//! What holds of the store's operations, proved over the model.

use vstd::prelude::*;
use crate::address::{Address, Protocol, Timestamp};
use crate::entries::lookup;
use crate::flow::FlowRecord;
use crate::model::{
    holds, members, merge_communication, merge_destination, merge_destinations, merge_stores,
    observe, take_in, take_in_all, CommunicationView, ConnectionKey, Stamp, StoreView,
};

verus! {

/// The tuples that the complete records among `records` name.
pub open spec fn named_by(records: Seq<FlowRecord>) -> Set<(Address, Address, u16, Protocol)> {
    Set::new(
        |t: (Address, Address, u16, Protocol)|
            exists|i: int|
                0 <= i < records.len() && {
                    let r = #[trigger] records[i];
                    &&& r.complete()
                    &&& r.src_addr == Some(t.0)
                    &&& r.dst_addr == Some(t.1)
                    &&& r.dst_port == Some(t.2)
                    &&& r.protocol_number == Some(t.3)
                },
    )
}

/// An observation adds its tuple to the store and takes none away. The
/// connection and its source are last seen at `now`.
pub proof fn law_observe(
    store: StoreView,
    src: Address,
    dst: Address,
    port: u16,
    protocol: Protocol,
    now: Timestamp,
)
    ensures
        members(observe(store, src, dst, port, protocol, now)) == members(store).insert(
            (src, dst, port, protocol),
        ),
        observe(store, src, dst, port, protocol, now)[src].connections[dst][(port, protocol)] == (Stamp {
            created_at: now,
            updated_at: now,
        }),
        observe(store, src, dst, port, protocol, now)[src].updated_at == now,
{
    let after = observe(store, src, dst, port, protocol, now);
    assert forall|t: (Address, Address, u16, Protocol)| members(after).contains(t) <==> members(
        store,
    ).insert((src, dst, port, protocol)).contains(t) by {
        if t.0 == src && t.1 == dst {
        } else if t.0 == src {
        } else {
        }
    }
    assert(members(after) =~= members(store).insert((src, dst, port, protocol)));
}

/// With a clock that does not run backwards, an observation moves no time
/// back: the connection is first seen no earlier than before, its source is
/// last updated no earlier than before, and the time at which the source was
/// first seen does not change.
pub proof fn law_observe_keeps_order(
    store: StoreView,
    src: Address,
    dst: Address,
    port: u16,
    protocol: Protocol,
    now: Timestamp,
)
    requires
        holds(store, src, dst, port, protocol),
        store[src].connections[dst][(port, protocol)].created_at <= now,
        store[src].updated_at <= now,
    ensures
        ({
            let after = observe(store, src, dst, port, protocol, now);
            &&& after[src].connections[dst][(port, protocol)].created_at
                >= store[src].connections[dst][(port, protocol)].created_at
            &&& after[src].updated_at >= store[src].updated_at
            &&& after[src].created_at == store[src].created_at
        }),
{
}

/// A merge holds what either store held, and nothing else.
pub proof fn law_merge_members(local: StoreView, foreign: StoreView, now: Timestamp)
    ensures
        members(merge_stores(local, foreign, now)) == members(local).union(members(foreign)),
{
    let after = merge_stores(local, foreign, now);
    assert forall|t: (Address, Address, u16, Protocol)| members(after).contains(t) <==> (members(
        local,
    ).contains(t) || members(foreign).contains(t)) by {
        lemma_merge_holds(local, foreign, now, t.0, t.1, t.2, t.3);
    }
    assert(members(after) =~= members(local).union(members(foreign)));
}

/// A merged store holds a tuple exactly if one of the two stores held it.
pub proof fn lemma_merge_holds(
    local: StoreView,
    foreign: StoreView,
    now: Timestamp,
    src: Address,
    dst: Address,
    port: u16,
    protocol: Protocol,
)
    ensures
        holds(merge_stores(local, foreign, now), src, dst, port, protocol) <==> (holds(
            local,
            src,
            dst,
            port,
            protocol,
        ) || holds(foreign, src, dst, port, protocol)),
{
    let after = merge_stores(local, foreign, now);
    if foreign.contains_key(src) {
        let l = lookup(local, src);
        let f = foreign[src];
        assert(after[src] == merge_communication(l, f, now));
        let ld = match l {
            Some(c) => c.connections,
            None => Map::empty(),
        };
        assert(after[src].connections == merge_destinations(ld, f.connections, now));
        if f.connections.contains_key(dst) {
            assert(after[src].connections[dst] == merge_destination(
                lookup(ld, dst),
                f.connections[dst],
                now,
            ));
        }
    }
}

/// Merging the same store in a second time, at whatever time, changes no
/// membership: every tuple is held once, as after the first merge.
pub proof fn law_merge_twice(local: StoreView, foreign: StoreView, first: Timestamp, second: Timestamp)
    ensures
        members(merge_stores(merge_stores(local, foreign, first), foreign, second)) == members(
            merge_stores(local, foreign, first),
        ),
{
    let once = merge_stores(local, foreign, first);
    law_merge_members(local, foreign, first);
    law_merge_members(once, foreign, second);
    assert(members(once).union(members(foreign)) =~= members(once));
}

/// Merging the same store in a second time at the same moment changes nothing
/// at all.
pub proof fn law_merge_twice_at_once(local: StoreView, foreign: StoreView, now: Timestamp)
    ensures
        merge_stores(merge_stores(local, foreign, now), foreign, now) == merge_stores(
            local,
            foreign,
            now,
        ),
{
    let once = merge_stores(local, foreign, now);
    let twice = merge_stores(once, foreign, now);
    assert forall|s: Address| twice.contains_key(s) implies twice[s] == once[s] by {
        if foreign.contains_key(s) {
            let f = foreign[s];
            let l = lookup(local, s);
            assert(once[s] == merge_communication(l, f, now));
            assert(twice[s] == merge_communication(Some(once[s]), f, now));
            let ld = match l {
                Some(c) => c.connections,
                None => Map::empty(),
            };
            let od = once[s].connections;
            assert(od == merge_destinations(ld, f.connections, now));
            let td = twice[s].connections;
            assert(td == merge_destinations(od, f.connections, now));
            assert forall|d: Address| td.contains_key(d) implies td[d] == od[d] by {
                if f.connections.contains_key(d) {
                    assert(od[d] == merge_destination(lookup(ld, d), f.connections[d], now));
                    assert(td[d] == merge_destination(Some(od[d]), f.connections[d], now));
                    assert forall|k: ConnectionKey| td[d].contains_key(k) implies td[d][k]
                        == od[d][k] by {}
                    assert(td[d] =~= od[d]);
                }
            }
            assert(td =~= od);
        }
    }
    assert(twice =~= once);
}

/// Merging one record twice leaves exactly one connection under its
/// destination, port and protocol: into an empty store, the destination then
/// holds that connection and no other.
pub proof fn law_single_record_twice(
    src: Address,
    dst: Address,
    port: u16,
    protocol: Protocol,
    seen: Timestamp,
    first: Timestamp,
    second: Timestamp,
)
    ensures
        ({
            let batch = observe(Map::empty(), src, dst, port, protocol, seen);
            let twice = merge_stores(merge_stores(Map::empty(), batch, first), batch, second);
            &&& twice.dom() == set![src]
            &&& twice[src].connections.dom() == set![dst]
            &&& twice[src].connections[dst].dom() == set![(port, protocol)]
            &&& twice[src].connections[dst].dom().len() == 1
            &&& twice[src].connections[dst][(port, protocol)] == (Stamp {
                created_at: seen,
                updated_at: second,
            })
        }),
{
    let batch = observe(Map::empty(), src, dst, port, protocol, seen);
    let once = merge_stores(Map::empty(), batch, first);
    let twice = merge_stores(once, batch, second);
    assert(batch.dom() =~= set![src]);
    assert(batch[src].connections.dom() =~= set![dst]);
    assert(batch[src].connections[dst].dom() =~= set![(port, protocol)]);
    assert(once.dom() =~= set![src]);
    assert(once[src].connections.dom() =~= set![dst]);
    assert(once[src].connections[dst].dom() =~= set![(port, protocol)]);
    assert(twice.dom() =~= set![src]);
    assert(twice[src].connections.dom() =~= set![dst]);
    assert(twice[src].connections[dst].dom() =~= set![(port, protocol)]);
}

/// After a merge at `now`, every connection that the foreign store held is
/// last seen at `now`, whatever time it carried before on either side, and so
/// is its source. It keeps the time at which it was first seen here, and is
/// otherwise first seen when the foreign store first saw it.
pub proof fn law_merge_stamps(
    local: StoreView,
    foreign: StoreView,
    now: Timestamp,
    src: Address,
    dst: Address,
    port: u16,
    protocol: Protocol,
)
    requires
        holds(foreign, src, dst, port, protocol),
    ensures
        ({
            let after = merge_stores(local, foreign, now);
            &&& holds(after, src, dst, port, protocol)
            &&& after[src].updated_at == now
            &&& after[src].connections[dst][(port, protocol)].updated_at == now
            &&& after[src].connections[dst][(port, protocol)].created_at == if holds(
                local,
                src,
                dst,
                port,
                protocol,
            ) {
                local[src].connections[dst][(port, protocol)].created_at
            } else {
                foreign[src].connections[dst][(port, protocol)].created_at
            }
        }),
{
    lemma_merge_holds(local, foreign, now, src, dst, port, protocol);
    let after = merge_stores(local, foreign, now);
    let l = lookup(local, src);
    let f = foreign[src];
    assert(after[src] == merge_communication(l, f, now));
    let ld = match l {
        Some(c) => c.connections,
        None => Map::empty(),
    };
    assert(after[src].connections == merge_destinations(ld, f.connections, now));
    assert(after[src].connections[dst] == merge_destination(
        lookup(ld, dst),
        f.connections[dst],
        now,
    ));
}

/// A later merge of the same connection decides when it was last seen: after
/// a merge at `first` and one at `second`, that is `second`.
pub proof fn law_later_merge_wins(
    local: StoreView,
    earlier: StoreView,
    later: StoreView,
    first: Timestamp,
    second: Timestamp,
    src: Address,
    dst: Address,
    port: u16,
    protocol: Protocol,
)
    requires
        holds(earlier, src, dst, port, protocol),
        holds(later, src, dst, port, protocol),
    ensures
        merge_stores(merge_stores(local, earlier, first), later, second)[src].connections[dst][(
            port,
            protocol,
        )].updated_at == second,
        merge_stores(merge_stores(local, earlier, first), later, second)[src].connections[dst][(
            port,
            protocol,
        )].created_at == merge_stores(local, earlier, first)[src].connections[dst][(
            port,
            protocol,
        )].created_at,
{
    law_merge_stamps(local, earlier, first, src, dst, port, protocol);
    law_merge_stamps(merge_stores(local, earlier, first), later, second, src, dst, port, protocol);
}

/// With a clock that does not run backwards, the time at which a source was
/// last updated never decreases across a merge, and the time at which it was
/// first seen does not change.
pub proof fn law_merge_keeps_order(
    local: StoreView,
    foreign: StoreView,
    now: Timestamp,
    src: Address,
)
    requires
        local.contains_key(src),
        local[src].updated_at <= now,
    ensures
        merge_stores(local, foreign, now).contains_key(src),
        merge_stores(local, foreign, now)[src].updated_at >= local[src].updated_at,
        merge_stores(local, foreign, now)[src].created_at == local[src].created_at,
{
}

/// What a merge does not name, it leaves alone: a source that the foreign
/// store does not know is as it was.
pub proof fn law_merge_frame(local: StoreView, foreign: StoreView, now: Timestamp, src: Address)
    requires
        !foreign.contains_key(src),
    ensures
        lookup(merge_stores(local, foreign, now), src) == lookup(local, src),
{
}

/// Merges of stores that share no source commute: in either order the final
/// store is the same, timestamps included, when each merge keeps its time.
pub proof fn law_disjoint_merges_commute(
    local: StoreView,
    a: StoreView,
    b: StoreView,
    time_a: Timestamp,
    time_b: Timestamp,
)
    requires
        a.dom().disjoint(b.dom()),
    ensures
        merge_stores(merge_stores(local, a, time_a), b, time_b) == merge_stores(
            merge_stores(local, b, time_b),
            a,
            time_a,
        ),
{
    let ab = merge_stores(merge_stores(local, a, time_a), b, time_b);
    let ba = merge_stores(merge_stores(local, b, time_b), a, time_a);
    assert forall|s: Address| ab.contains_key(s) implies ab[s] == ba[s] by {
        if a.contains_key(s) {
            assert(!b.contains_key(s));
            assert(lookup(merge_stores(local, b, time_b), s) == lookup(local, s));
        } else if b.contains_key(s) {
            assert(lookup(merge_stores(local, a, time_a), s) == lookup(local, s));
        }
    }
    assert(ab =~= ba);
}

/// Whatever the other stores hold, the membership after two merges does not
/// depend on their order.
pub proof fn law_merges_commute_on_members(
    local: StoreView,
    a: StoreView,
    b: StoreView,
    time_a: Timestamp,
    time_b: Timestamp,
)
    ensures
        members(merge_stores(merge_stores(local, a, time_a), b, time_b)) == members(
            merge_stores(merge_stores(local, b, time_b), a, time_a),
        ),
{
    law_merge_members(local, a, time_a);
    law_merge_members(merge_stores(local, a, time_a), b, time_b);
    law_merge_members(local, b, time_b);
    law_merge_members(merge_stores(local, b, time_b), a, time_a);
    assert(members(local).union(members(a)).union(members(b)) =~= members(local).union(
        members(b),
    ).union(members(a)));
}

/// A record that lacks its destination port changes nothing, and neither does
/// one that lacks another of the four fields.
pub proof fn law_incomplete_record(store: StoreView, record: FlowRecord, now: Timestamp)
    ensures
        record.dst_port is None ==> take_in(store, record, now) == store,
        !record.complete() ==> take_in(store, record, now) == store,
        record.complete() ==> take_in(store, record, now) == observe(
            store,
            record.src_addr->0,
            record.dst_addr->0,
            record.dst_port->0,
            record.protocol_number->0,
            now,
        ),
{
}

/// Taking records in adds the tuples that the complete ones name, at
/// whatever time, and takes none away.
pub proof fn law_take_in_members(store: StoreView, records: Seq<FlowRecord>, now: Timestamp)
    ensures
        members(take_in_all(store, records, now)) == members(store).union(named_by(records)),
    decreases records.len(),
{
    if records.len() == 0 {
        assert(members(store).union(named_by(records)) =~= members(store));
    } else {
        let head = records.drop_last();
        let last = records.last();
        law_take_in_members(store, head, now);
        let before = take_in_all(store, head, now);
        assert(take_in_all(store, records, now) == take_in(before, last, now));
        if last.complete() {
            law_observe(
                before,
                last.src_addr->0,
                last.dst_addr->0,
                last.dst_port->0,
                last.protocol_number->0,
                now,
            );
        }
        assert forall|t: (Address, Address, u16, Protocol)| named_by(records).contains(t) <==> (named_by(
            head,
        ).contains(t) || (last.complete() && t == (
            last.src_addr->0,
            last.dst_addr->0,
            last.dst_port->0,
            last.protocol_number->0,
        ))) by {
            if named_by(records).contains(t) {
                let i = choose|i: int|
                    0 <= i < records.len() && {
                        let r = #[trigger] records[i];
                        &&& r.complete()
                        &&& r.src_addr == Some(t.0)
                        &&& r.dst_addr == Some(t.1)
                        &&& r.dst_port == Some(t.2)
                        &&& r.protocol_number == Some(t.3)
                    };
                if i < head.len() {
                    assert(head[i] == records[i]);
                }
            }
            if named_by(head).contains(t) {
                let i = choose|i: int|
                    0 <= i < head.len() && {
                        let r = #[trigger] head[i];
                        &&& r.complete()
                        &&& r.src_addr == Some(t.0)
                        &&& r.dst_addr == Some(t.1)
                        &&& r.dst_port == Some(t.2)
                        &&& r.protocol_number == Some(t.3)
                    };
                assert(records[i] == head[i]);
            }
            if last.complete() && t == (
                last.src_addr->0,
                last.dst_addr->0,
                last.dst_port->0,
                last.protocol_number->0,
            ) {
                assert(records[records.len() - 1] == last);
            }
        }
        assert(members(take_in_all(store, records, now)) =~= members(store).union(
            named_by(records),
        ));
    }
}

/// Reprocessing is safe: when the records of one capture are decoded and
/// merged a second time, at whatever times, the store holds the tuples that
/// it held after the first time, each once.
pub proof fn law_reprocessing(
    local: StoreView,
    records: Seq<FlowRecord>,
    decoded_first: Timestamp,
    merged_first: Timestamp,
    decoded_again: Timestamp,
    merged_again: Timestamp,
)
    ensures
        ({
            let once = merge_stores(
                local,
                take_in_all(Map::empty(), records, decoded_first),
                merged_first,
            );
            let twice = merge_stores(
                once,
                take_in_all(Map::empty(), records, decoded_again),
                merged_again,
            );
            &&& members(twice) == members(once)
            &&& members(once) == members(local).union(named_by(records))
        }),
{
    let first = take_in_all(Map::empty(), records, decoded_first);
    let again = take_in_all(Map::empty(), records, decoded_again);
    let once = merge_stores(local, first, merged_first);
    law_take_in_members(Map::empty(), records, decoded_first);
    law_take_in_members(Map::empty(), records, decoded_again);
    law_merge_members(local, first, merged_first);
    law_merge_members(once, again, merged_again);
    assert(members(Map::<Address, CommunicationView>::empty()) =~= Set::empty());
    assert(members(first) =~= named_by(records));
    assert(members(again) =~= named_by(records));
    assert(members(once).union(members(again)) =~= members(once));
    assert(members(local).union(members(first)) =~= members(local).union(named_by(records)));
}

} // verus!
