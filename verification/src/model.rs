//! The mathematical model of the store and of its operations.
//!
//! The store maps a source address to what is known of it, that maps a
//! destination address to its connections, and those are keyed by port and
//! protocol, so no key occurs twice at any level.
//!
//! Two timestamps stand beside every connection and every source. An
//! observation stamps its connection afresh with the time at which it was
//! made. A merge keeps the time at which a connection, or a source, was first
//! seen in the store that takes the other in, and marks as last seen at the
//! time of the merge whatever the other store named.

use vstd::prelude::*;
use crate::address::{Address, Protocol, Timestamp};
use crate::entries::merged;
use crate::flow::FlowRecord;

verus! {

/// What identifies a connection under one source and destination.
pub type ConnectionKey = (u16, Protocol);

/// When a connection was first and last observed.
pub ghost struct Stamp {
    pub created_at: Timestamp,
    pub updated_at: Timestamp,
}

/// The connections of one destination, by port and protocol.
pub type ConnectionsView = Map<ConnectionKey, Stamp>;

/// What is known of one source address.
pub ghost struct CommunicationView {
    /// The connections observed, by destination address.
    pub connections: Map<Address, ConnectionsView>,
    /// When this source was first seen.
    pub created_at: Timestamp,
    /// When a connection under this source last changed.
    pub updated_at: Timestamp,
}

/// The whole store, by source address.
pub type StoreView = Map<Address, CommunicationView>;

/// A communication with no destination yet, first seen at `now`.
pub open spec fn fresh_communication(now: Timestamp) -> CommunicationView {
    CommunicationView { connections: Map::empty(), created_at: now, updated_at: now }
}

/// The connections of `dst` in `destinations`, none if it is unknown.
pub open spec fn connections_of(
    destinations: Map<Address, ConnectionsView>,
    dst: Address,
) -> ConnectionsView {
    if destinations.contains_key(dst) {
        destinations[dst]
    } else {
        Map::empty()
    }
}

/// The store after one observation at `now`: the connection gets a fresh pair
/// of timestamps, whether or not it was there, and its source is marked as
/// updated. A source that is new is first seen at `now`.
pub open spec fn observe(
    store: StoreView,
    src: Address,
    dst: Address,
    port: u16,
    protocol: Protocol,
    now: Timestamp,
) -> StoreView {
    let known = if store.contains_key(src) {
        store[src]
    } else {
        fresh_communication(now)
    };
    let connections = connections_of(known.connections, dst).insert(
        (port, protocol),
        Stamp { created_at: now, updated_at: now },
    );
    store.insert(
        src,
        CommunicationView {
            connections: known.connections.insert(dst, connections),
            created_at: known.created_at,
            updated_at: now,
        },
    )
}

/// The stamp of a connection after `incoming` was merged over it at `now`: it
/// keeps the time at which it was first seen here, if it was, and is last seen
/// at `now`.
pub open spec fn merge_stamp(local: Option<Stamp>, incoming: Stamp, now: Timestamp) -> Stamp {
    Stamp {
        created_at: match local {
            Some(l) => l.created_at,
            None => incoming.created_at,
        },
        updated_at: now,
    }
}

/// How one connection is merged at `now`.
pub open spec fn stamp_merger(now: Timestamp) -> spec_fn(Option<Stamp>, Stamp) -> Stamp {
    |local: Option<Stamp>, incoming: Stamp| merge_stamp(local, incoming, now)
}

/// The connections of one destination after `foreign` was merged in at `now`.
pub open spec fn merge_connections(
    local: ConnectionsView,
    foreign: ConnectionsView,
    now: Timestamp,
) -> ConnectionsView {
    merged(local, foreign, stamp_merger(now))
}

/// The connections of one destination after `incoming` was merged over them at
/// `now`; a destination that was unknown had none.
pub open spec fn merge_destination(
    local: Option<ConnectionsView>,
    incoming: ConnectionsView,
    now: Timestamp,
) -> ConnectionsView {
    merge_connections(
        match local {
            Some(l) => l,
            None => Map::empty(),
        },
        incoming,
        now,
    )
}

/// How one destination is merged at `now`.
pub open spec fn destination_merger(now: Timestamp) -> spec_fn(
    Option<ConnectionsView>,
    ConnectionsView,
) -> ConnectionsView {
    |local: Option<ConnectionsView>, incoming: ConnectionsView|
        merge_destination(local, incoming, now)
}

/// The destinations of one source after `foreign` was merged in at `now`.
pub open spec fn merge_destinations(
    local: Map<Address, ConnectionsView>,
    foreign: Map<Address, ConnectionsView>,
    now: Timestamp,
) -> Map<Address, ConnectionsView> {
    merged(local, foreign, destination_merger(now))
}

/// One source after the foreign record of it was merged in at `now`. A source
/// that was unknown here is first seen when the foreign store first saw it.
pub open spec fn merge_communication(
    local: Option<CommunicationView>,
    foreign: CommunicationView,
    now: Timestamp,
) -> CommunicationView {
    match local {
        Some(l) => CommunicationView {
            connections: merge_destinations(l.connections, foreign.connections, now),
            created_at: l.created_at,
            updated_at: now,
        },
        None => CommunicationView {
            connections: merge_destinations(Map::empty(), foreign.connections, now),
            created_at: foreign.created_at,
            updated_at: now,
        },
    }
}

/// How one source is merged at `now`.
pub open spec fn communication_merger(now: Timestamp) -> spec_fn(
    Option<CommunicationView>,
    CommunicationView,
) -> CommunicationView {
    |local: Option<CommunicationView>, foreign: CommunicationView|
        merge_communication(local, foreign, now)
}

/// The store after the whole of `foreign` was merged in at `now`.
pub open spec fn merge_stores(local: StoreView, foreign: StoreView, now: Timestamp) -> StoreView {
    merged(local, foreign, communication_merger(now))
}

/// The store after one flow record was taken in at `now`: a record that lacks
/// the source, the destination, the destination port or the protocol leaves
/// the store as it was.
pub open spec fn take_in(store: StoreView, record: FlowRecord, now: Timestamp) -> StoreView {
    if record.complete() {
        observe(
            store,
            record.src_addr->0,
            record.dst_addr->0,
            record.dst_port->0,
            record.protocol_number->0,
            now,
        )
    } else {
        store
    }
}

/// The store after the records were taken in at `now`, first to last.
pub open spec fn take_in_all(store: StoreView, records: Seq<FlowRecord>, now: Timestamp) -> StoreView {
    records.fold_left(store, |s: StoreView, r: FlowRecord| take_in(s, r, now))
}

/// The store holds a connection from `src` to `dst` on `port` and `protocol`.
pub open spec fn holds(
    store: StoreView,
    src: Address,
    dst: Address,
    port: u16,
    protocol: Protocol,
) -> bool {
    &&& store.contains_key(src)
    &&& store[src].connections.contains_key(dst)
    &&& store[src].connections[dst].contains_key((port, protocol))
}

/// The (source, destination, port, protocol) tuples that the store holds.
pub open spec fn members(store: StoreView) -> Set<(Address, Address, u16, Protocol)> {
    Set::new(|t: (Address, Address, u16, Protocol)| holds(store, t.0, t.1, t.2, t.3))
}

} // verus!
