//! The store: every source address seen, with what is known of it.

use vstd::prelude::*;
use crate::address::{Address, Protocol, Timestamp};
use crate::clock::now;
use crate::communication::Communication;
use crate::entries::{
    as_map, distinct_keys, has_key, lemma_as_map_empty, lemma_as_map_entry, lemma_as_map_len,
    lemma_as_map_push, lemma_as_map_update, lemma_merged_none, lemma_merged_step, lemma_take_all,
    lookup, merged,
};
use crate::flow::FlowRecord;
use crate::model::{
    communication_merger, holds, merge_communication, merge_stores, observe, take_in,
    take_in_all, CommunicationView, StoreView,
};

verus! {

/// One source address with what is known of it.
#[derive(Debug)]
pub struct Source {
    address: Address,
    communication: Communication,
}

impl Source {
    /// The address of this source.
    pub closed spec fn spec_address(&self) -> Address {
        self.address
    }

    /// What is known of this source.
    pub closed spec fn spec_communication(&self) -> Communication {
        self.communication
    }

    /// The address of this source.
    pub fn address(&self) -> (a: Address)
        ensures
            a == self.spec_address(),
    {
        self.address
    }

    /// What is known of this source.
    pub fn communication(&self) -> (c: &Communication)
        ensures
            *c == self.spec_communication(),
    {
        &self.communication
    }
}

/// The source as an entry of a map.
pub open spec fn entry_of(s: Source) -> (Address, CommunicationView) {
    (s.spec_address(), s.spec_communication()@)
}

/// The entries that a sequence of sources spells.
pub open spec fn entries_of(s: Seq<Source>) -> Seq<(Address, CommunicationView)> {
    s.map_values(|x: Source| entry_of(x))
}

/// The aggregated store. No two of its sources share an address, no two
/// destinations of a source share an address, and no two connections of a
/// destination share port and protocol.
#[derive(Debug)]
pub struct Communications {
    sources: Vec<Source>,
}

impl View for Communications {
    type V = StoreView;

    closed spec fn view(&self) -> StoreView {
        as_map(entries_of(self.sources@))
    }
}

impl Communications {
    /// The sources in the order in which they were first seen.
    pub closed spec fn sources(&self) -> Seq<Source> {
        self.sources@
    }

    /// Sources are distinct and each record is well formed.
    pub closed spec fn wf(&self) -> bool {
        &&& distinct_keys(entries_of(self.sources@))
        &&& forall|i: int|
            0 <= i < self.sources@.len() ==> (#[trigger] self.sources@[i]).communication.wf()
    }

    /// What `wf` and the view mean for the sources.
    pub proof fn lemma_sources(&self)
        requires
            self.wf(),
        ensures
            self@.dom().finite(),
            self@.dom().len() == self.sources().len(),
            forall|i: int, j: int|
                0 <= i < j < self.sources().len() ==> self.sources()[i].spec_address()
                    != self.sources()[j].spec_address(),
            forall|i: int|
                0 <= i < self.sources().len() ==> {
                    let s = #[trigger] self.sources()[i];
                    &&& s.spec_communication().wf()
                    &&& self@.contains_key(s.spec_address())
                    &&& self@[s.spec_address()] == s.spec_communication()@
                },
            forall|a: Address|
                self@.contains_key(a) ==> exists|i: int|
                    0 <= i < self.sources().len() && (#[trigger] self.sources()[i]).spec_address() == a,
    {
        let e = entries_of(self.sources@);
        lemma_as_map_len(e);
        assert forall|i: int, j: int| 0 <= i < j < self.sources().len() implies self.sources()[i].spec_address()
            != self.sources()[j].spec_address() by {
            assert(e[i].0 != e[j].0);
        }
        assert forall|i: int| 0 <= i < self.sources().len() implies {
            let s = #[trigger] self.sources()[i];
            &&& s.spec_communication().wf()
            &&& self@.contains_key(s.spec_address())
            &&& self@[s.spec_address()] == s.spec_communication()@
        } by {
            lemma_as_map_entry(e, i);
            assert(self.sources@[i].communication.wf());
        }
        assert forall|a: Address| self@.contains_key(a) implies exists|i: int|
            0 <= i < self.sources().len() && (#[trigger] self.sources()[i]).spec_address() == a by {
            let i = choose|i: int| 0 <= i < e.len() && (#[trigger] e[i]).0 == a;
            assert(self.sources()[i].spec_address() == a);
        }
    }

    /// No two connections between the same source and destination share port
    /// and protocol.
    pub proof fn law_keys_unique(&self, s: int, d: int, a: int, b: int)
        requires
            self.wf(),
            0 <= s < self.sources().len(),
            0 <= d < self.sources()[s].spec_communication().destinations().len(),
            0 <= a < b
                < self.sources()[s].spec_communication().destinations()[d].spec_connections().items().len(),
        ensures
            ({
                let items =
                    self.sources()[s].spec_communication().destinations()[d].spec_connections().items();
                items[a].key() != items[b].key()
            }),
    {
        self.lemma_sources();
        let communication = self.sources()[s].spec_communication();
        communication.lemma_destinations();
        communication.destinations()[d].spec_connections().lemma_items();
    }

    /// The empty store.
    pub fn new() -> (store: Communications)
        ensures
            store.wf(),
            store@ == Map::<Address, CommunicationView>::empty(),
    {
        proof {
            lemma_as_map_empty::<Address, CommunicationView>();
        }
        let store = Communications { sources: Vec::new() };
        assert(entries_of(store.sources@) =~= Seq::empty());
        store
    }

    /// How many sources the store holds.
    pub fn len(&self) -> (n: usize)
        requires
            self.wf(),
        ensures
            n == self@.dom().len(),
            n == self.sources().len(),
    {
        proof {
            self.lemma_sources();
        }
        self.sources.len()
    }

    /// The `i`-th source, in the order in which they were first seen.
    pub fn nth(&self, i: usize) -> (s: &Source)
        requires
            i < self.sources().len(),
        ensures
            *s == self.sources()[i as int],
    {
        &self.sources[i]
    }

    /// Where the source with this address stands, if it is here.
    fn find(&self, src: Address) -> (r: Option<usize>)
        ensures
            match r {
                Some(i) => i < self.sources@.len() && self.sources@[i as int].address == src,
                None => !has_key(entries_of(self.sources@), src),
            },
    {
        let mut i: usize = 0;
        while i < self.sources.len()
            invariant
                i <= self.sources@.len(),
                forall|j: int| 0 <= j < i ==> self.sources@[j].address != src,
            decreases self.sources@.len() - i,
        {
            if self.sources[i].address == src {
                return Some(i);
            }
            i += 1;
        }
        proof {
            let e = entries_of(self.sources@);
            if has_key(e, src) {
                let j = choose|j: int| 0 <= j < e.len() && (#[trigger] e[j]).0 == src;
                assert(self.sources@[j].address == src);
            }
        }
        None
    }

    /// What is known of `src`, if the store has seen it.
    pub fn get(&self, src: Address) -> (r: Option<&Communication>)
        requires
            self.wf(),
        ensures
            r is Some <==> self@.contains_key(src),
            r matches Some(c) ==> c.wf() && c@ == self@[src],
    {
        match self.find(src) {
            Some(i) => {
                proof {
                    lemma_as_map_entry(entries_of(self.sources@), i as int);
                }
                Some(&self.sources[i].communication)
            },
            None => None,
        }
    }

    /// Whether the store holds a connection from `src` to `dst` on `port` and
    /// `protocol`.
    pub fn contains(&self, src: Address, dst: Address, port: u16, protocol: Protocol) -> (r: bool)
        requires
            self.wf(),
        ensures
            r == holds(self@, src, dst, port, protocol),
    {
        match self.get(src) {
            Some(communication) => match communication.get(dst) {
                Some(set) => set.get(port, protocol).is_some(),
                None => false,
            },
            None => false,
        }
    }

    /// Records one observation made at `now`.
    pub fn insert_at(
        &mut self,
        src: Address,
        dst: Address,
        port: u16,
        protocol: Protocol,
        now: Timestamp,
    )
        requires
            old(self).wf(),
        ensures
            final(self).wf(),
            final(self)@ == observe(old(self)@, src, dst, port, protocol, now),
    {
        let ghost before = entries_of(self.sources@);
        match self.find(src) {
            Some(i) => {
                proof {
                    lemma_as_map_entry(before, i as int);
                }
                self.sources[i].communication.record(dst, port, protocol, now);
                proof {
                    let after = self.sources@[i as int].communication@;
                    lemma_as_map_update(before, i as int, after);
                    assert(entries_of(self.sources@) =~= before.update(i as int, (src, after)));
                }
            },
            None => {
                let mut communication = Communication::new(now);
                communication.record(dst, port, protocol, now);
                self.sources.push(Source { address: src, communication });
                proof {
                    lemma_as_map_push(before, src, communication@);
                    assert(entries_of(self.sources@) =~= before.push((src, communication@)));
                }
            },
        }
    }

    /// Records one observation, made now by the system clock.
    pub fn insert(&mut self, src_ip_addr: Address, dst_ip_addr: Address, port: u16, protocol: Protocol)
        requires
            old(self).wf(),
        ensures
            final(self).wf(),
            exists|now: Timestamp|
                final(self)@ == #[trigger] observe(
                    old(self)@,
                    src_ip_addr,
                    dst_ip_addr,
                    port,
                    protocol,
                    now,
                ),
    {
        let now = now();
        self.insert_at(src_ip_addr, dst_ip_addr, port, protocol, now);
    }

    /// Merges the foreign record of one source in at `now`.
    fn merge_source(&mut self, src: Address, foreign: &Communication, now: Timestamp)
        requires
            old(self).wf(),
            foreign.wf(),
        ensures
            final(self).wf(),
            final(self)@ == old(self)@.insert(
                src,
                merge_communication(lookup(old(self)@, src), foreign@, now),
            ),
    {
        let ghost before = entries_of(self.sources@);
        match self.find(src) {
            Some(i) => {
                proof {
                    lemma_as_map_entry(before, i as int);
                }
                self.sources[i].communication.merge(foreign, now);
                proof {
                    let after = self.sources@[i as int].communication@;
                    lemma_as_map_update(before, i as int, after);
                    assert(entries_of(self.sources@) =~= before.update(i as int, (src, after)));
                }
            },
            None => {
                let communication = Communication::adopt(foreign, now);
                self.sources.push(Source { address: src, communication });
                proof {
                    lemma_as_map_push(before, src, communication@);
                    assert(entries_of(self.sources@) =~= before.push((src, communication@)));
                }
            },
        }
    }

    /// Merges the whole of `other` in at `now`. Every connection of `other` is
    /// then held here and last seen at `now`; one that was held before keeps
    /// the time at which it was first seen here. What `other` does not name is
    /// left as it was.
    pub fn merge_at(&mut self, other: &Communications, now: Timestamp)
        requires
            old(self).wf(),
            other.wf(),
        ensures
            final(self).wf(),
            final(self)@ == merge_stores(old(self)@, other@, now),
    {
        let ghost start = self@;
        let ghost incoming = entries_of(other.sources@);
        let n = other.sources.len();
        let mut i: usize = 0;
        proof {
            lemma_merged_none::<Address, CommunicationView, CommunicationView>(
                start,
                communication_merger(now),
            );
            assert(incoming.take(0) =~= Seq::empty());
        }
        while i < n
            invariant
                i <= n,
                n == other.sources@.len(),
                incoming == entries_of(other.sources@),
                other.wf(),
                self.wf(),
                self@ == merged(start, as_map(incoming.take(i as int)), communication_merger(now)),
            decreases n - i,
        {
            proof {
                lemma_merged_step(start, incoming, i as int, communication_merger(now));
            }
            let s = &other.sources[i];
            self.merge_source(s.address, &s.communication, now);
            i += 1;
        }
        proof {
            lemma_take_all(incoming);
        }
    }

    /// Merges the whole of `other` in, now by the system clock.
    pub fn merge(&mut self, other: Communications)
        requires
            old(self).wf(),
            other.wf(),
        ensures
            final(self).wf(),
            exists|now: Timestamp| final(self)@ == #[trigger] merge_stores(old(self)@, other@, now),
    {
        let now = now();
        self.merge_at(&other, now);
    }

    /// Takes one flow record in at `now`. A record that lacks the source, the
    /// destination, the destination port or the protocol is dropped.
    pub fn take_in_at(&mut self, record: &FlowRecord, now: Timestamp)
        requires
            old(self).wf(),
        ensures
            final(self).wf(),
            final(self)@ == take_in(old(self)@, *record, now),
    {
        let src = match record.src_addr {
            Some(a) => a,
            None => return,
        };
        let dst = match record.dst_addr {
            Some(a) => a,
            None => return,
        };
        let port = match record.dst_port {
            Some(p) => p,
            None => return,
        };
        let protocol = match record.protocol_number {
            Some(p) => p,
            None => return,
        };
        self.insert_at(src, dst, port, protocol, now);
    }

    /// The store that the records spell when all are taken in at `now`, first
    /// to last.
    pub fn from_records_at(records: &Vec<FlowRecord>, now: Timestamp) -> (store: Communications)
        ensures
            store.wf(),
            store@ == take_in_all(Map::empty(), records@, now),
    {
        let mut store = Communications::new();
        let mut i: usize = 0;
        while i < records.len()
            invariant
                i <= records@.len(),
                store.wf(),
                store@ == take_in_all(Map::empty(), records@.take(i as int), now),
            decreases records@.len() - i,
        {
            proof {
                assert(records@.take(i + 1).drop_last() =~= records@.take(i as int));
            }
            store.take_in_at(&records[i], now);
            i += 1;
        }
        proof {
            assert(records@.take(records@.len() as int) =~= records@);
        }
        store
    }

    /// The store that the records spell when all are taken in, first to last,
    /// now by the system clock.
    pub fn from(val: Vec<FlowRecord>) -> (store: Communications)
        ensures
            store.wf(),
            exists|now: Timestamp| store@ == #[trigger] take_in_all(Map::empty(), val@, now),
    {
        let now = now();
        Communications::from_records_at(&val, now)
    }
}

impl Clone for Source {
    /// A source with the same address and the same record.
    fn clone(&self) -> (r: Source)
        ensures
            r.spec_address() == self.spec_address(),
            r.spec_communication()@ == self.spec_communication()@,
            r.spec_communication().wf() == self.spec_communication().wf(),
    {
        Source { address: self.address, communication: self.communication.clone() }
    }
}

impl Clone for Communications {
    /// A store that holds the same as this one: a snapshot.
    fn clone(&self) -> (r: Communications)
        ensures
            r@ == self@,
            r.wf() == self.wf(),
    {
        let mut sources: Vec<Source> = Vec::new();
        let mut i: usize = 0;
        while i < self.sources.len()
            invariant
                i <= self.sources@.len(),
                sources@.len() == i,
                forall|j: int|
                    0 <= j < i ==> {
                        let copy = #[trigger] sources@[j];
                        &&& entry_of(copy) == entry_of(self.sources@[j])
                        &&& copy.communication.wf() == self.sources@[j].communication.wf()
                    },
            decreases self.sources@.len() - i,
        {
            sources.push(self.sources[i].clone());
            i += 1;
        }
        let r = Communications { sources };
        proof {
            assert(entries_of(r.sources@) =~= entries_of(self.sources@));
            if self.wf() {
                assert forall|j: int| 0 <= j < r.sources@.len() implies (#[trigger] r.sources@[j]).communication.wf() by {
                    assert(self.sources@[j].communication.wf());
                }
            }
            if r.wf() {
                assert forall|j: int| 0 <= j < self.sources@.len() implies (#[trigger] self.sources@[j]).communication.wf() by {
                    assert(r.sources@[j].communication.wf());
                }
            }
        }
        r
    }
}

impl Default for Communications {
    fn default() -> (store: Communications)
        ensures
            store.wf(),
            store@ == Map::<Address, CommunicationView>::empty(),
    {
        Communications::new()
    }
}

} // verus!
