//! Flow decoders, one per exporting peer.

use netflow_parser::netflow_common::NetflowCommonFlowSet;
use netflow_parser::NetflowParser;
use vstd::prelude::*;
use crate::entries::{
    as_map, distinct_keys, has_key, lemma_as_map_empty, lemma_as_map_entry, lemma_as_map_len,
    lemma_as_map_push, lemma_as_map_update,
};

verus! {

#[verifier::external_type_specification]
#[verifier::external_body]
pub struct ExNetflowParser(NetflowParser);

#[verifier::external_type_specification]
#[verifier::external_body]
pub struct ExNetflowCommonFlowSet(NetflowCommonFlowSet);

/// The datagrams that a decoder has decoded since it was made, in their
/// order.
pub uninterp spec fn fed(decoder: NetflowParser) -> Seq<Seq<u8>>;

/// The flow records that a decoder finds in `data` when it was made with the
/// settings of `NetflowParser::default` and has decoded `before` since. Such a
/// decoder keeps the templates that it has learned, reads no clock and asks
/// nothing outside itself, so what it finds depends on these bytes alone.
pub uninterp spec fn decoded_after(before: Seq<Seq<u8>>, data: Seq<u8>) -> Seq<
    NetflowCommonFlowSet,
>;

/// The flow records that a decoder finds in `data` when it has decoded
/// nothing before.
pub open spec fn decoded_alone(data: Seq<u8>) -> Seq<NetflowCommonFlowSet> {
    decoded_after(Seq::empty(), data)
}

/// The flow records that are found in `payloads` when each is decoded on its
/// own, in the order of the payloads.
pub open spec fn records_of(payloads: Seq<Seq<u8>>) -> Seq<NetflowCommonFlowSet>
    decreases payloads.len(),
{
    if payloads.len() == 0 {
        Seq::empty()
    } else {
        records_of(payloads.drop_last()) + decoded_alone(payloads.last())
    }
}

/// `NetflowParser::default`: a decoder that has decoded nothing yet. It is set
/// to expire no template, to hold back no flow and to use no template store.
#[verifier::external_body]
pub(crate) fn fresh_decoder() -> (decoder: NetflowParser)
    ensures
        fed(decoder) == Seq::<Seq<u8>>::empty(),
{
    NetflowParser::default()
}

/// `NetflowParser::parse_bytes_as_netflow_common_flowsets`, for a decoder
/// that `fresh_decoder` has made: the flow records that the decoder finds in
/// `data`, in the state in which the data before has left it. Data that is
/// malformed or cut short yields the records before the fault; the fault
/// itself is not reported. The decoder has then decoded `data` too.
#[verifier::external_body]
pub(crate) fn decode_with(decoder: &mut NetflowParser, data: &[u8]) -> (flowsets: Vec<
    NetflowCommonFlowSet,
>)
    ensures
        flowsets@ == decoded_after(fed(*old(decoder)), data@),
        fed(*final(decoder)) == fed(*old(decoder)).push(data@),
{
    decoder.parse_bytes_as_netflow_common_flowsets(data).0
}

/// The decoder of one peer.
pub struct PeerDecoder {
    peer: String,
    decoder: NetflowParser,
}

/// The decoder as an entry of a map: its peer, and the datagrams of that peer
/// that it has decoded.
pub closed spec fn entry_of(d: PeerDecoder) -> (Seq<char>, Seq<Seq<u8>>) {
    (d.peer@, fed(d.decoder))
}

/// The entries that a sequence of decoders spells.
pub closed spec fn entries_of(s: Seq<PeerDecoder>) -> Seq<(Seq<char>, Seq<Seq<u8>>)> {
    s.map_values(|d: PeerDecoder| entry_of(d))
}

/// The datagrams of `peer` that its decoder has decoded; none where the peer
/// has no decoder yet.
pub open spec fn heard(cache: Map<Seq<char>, Seq<Seq<u8>>>, peer: Seq<char>) -> Seq<Seq<u8>> {
    if cache.contains_key(peer) {
        cache[peer]
    } else {
        Seq::empty()
    }
}

/// The decoders of all peers heard so far, by peer address. A decoder is made
/// when its peer is first heard and is never dropped, so the cache grows with
/// the number of peers. The view gives, for every peer that has a decoder,
/// the datagrams that this decoder has decoded, in their order: what a
/// decoder finds in the next datagram depends on them.
pub struct DecoderCache {
    decoders: Vec<PeerDecoder>,
}

impl View for DecoderCache {
    type V = Map<Seq<char>, Seq<Seq<u8>>>;

    closed spec fn view(&self) -> Map<Seq<char>, Seq<Seq<u8>>> {
        as_map(entries_of(self.decoders@))
    }
}

impl DecoderCache {
    /// No two decoders belong to the same peer.
    pub closed spec fn wf(&self) -> bool {
        distinct_keys(entries_of(self.decoders@))
    }

    /// A cache that has heard no peer.
    pub fn new() -> (cache: DecoderCache)
        ensures
            cache.wf(),
            cache@ == Map::<Seq<char>, Seq<Seq<u8>>>::empty(),
    {
        proof {
            lemma_as_map_empty::<Seq<char>, Seq<Seq<u8>>>();
        }
        let cache = DecoderCache { decoders: Vec::new() };
        assert(entries_of(cache.decoders@) =~= Seq::empty());
        cache
    }

    /// The peers that have a decoder are finitely many.
    pub proof fn lemma_peers(&self)
        requires
            self.wf(),
        ensures
            self@.dom().finite(),
    {
        lemma_as_map_len(entries_of(self.decoders@));
    }

    /// How many peers have a decoder.
    pub fn len(&self) -> (n: usize)
        requires
            self.wf(),
        ensures
            self@.dom().finite(),
            n == self@.dom().len(),
    {
        proof {
            lemma_as_map_len(entries_of(self.decoders@));
        }
        self.decoders.len()
    }

    /// Where the decoder of `peer` stands, if it has one.
    fn find(&self, peer: &String) -> (r: Option<usize>)
        ensures
            match r {
                Some(i) => i < self.decoders@.len() && self.decoders@[i as int].peer@ == peer@,
                None => !has_key(entries_of(self.decoders@), peer@),
            },
    {
        let mut i: usize = 0;
        while i < self.decoders.len()
            invariant
                i <= self.decoders@.len(),
                forall|j: int| 0 <= j < i ==> self.decoders@[j].peer@ != peer@,
            decreases self.decoders@.len() - i,
        {
            if self.decoders[i].peer == *peer {
                return Some(i);
            }
            i += 1;
        }
        proof {
            let e = entries_of(self.decoders@);
            if has_key(e, peer@) {
                let j = choose|j: int| 0 <= j < e.len() && (#[trigger] e[j]).0 == peer@;
                assert(self.decoders@[j].peer@ == peer@);
            }
        }
        None
    }

    /// Whether `peer` has a decoder.
    pub fn knows(&self, peer: &String) -> (r: bool)
        requires
            self.wf(),
        ensures
            r == self@.contains_key(peer@),
    {
        match self.find(peer) {
            Some(i) => {
                proof {
                    lemma_as_map_entry(entries_of(self.decoders@), i as int);
                }
                true
            },
            None => false,
        }
    }

    /// Decodes one datagram of `peer` with the decoder of that peer, which is
    /// made first if this is the first datagram of the peer. The records are
    /// what that decoder finds in `data` after the datagrams of the peer that
    /// it has decoded before. Afterwards the decoder has decoded `data` too,
    /// and the decoder of every other peer is as it was.
    pub fn decode(&mut self, peer: &String, data: &[u8]) -> (flowsets: Vec<NetflowCommonFlowSet>)
        requires
            old(self).wf(),
        ensures
            final(self).wf(),
            flowsets@ == decoded_after(heard(old(self)@, peer@), data@),
            final(self)@ == old(self)@.insert(peer@, heard(old(self)@, peer@).push(data@)),
    {
        let ghost before = entries_of(self.decoders@);
        let i = match self.find(peer) {
            Some(i) => {
                proof {
                    lemma_as_map_entry(before, i as int);
                    assert(self@ =~= old(self)@.insert(peer@, heard(old(self)@, peer@)));
                }
                i
            },
            None => {
                let decoder = fresh_decoder();
                self.decoders.push(PeerDecoder { peer: peer.clone(), decoder });
                proof {
                    lemma_as_map_push(before, peer@, fed(decoder));
                    assert(entries_of(self.decoders@) =~= before.push((peer@, fed(decoder))));
                }
                self.decoders.len() - 1
            },
        };
        let ghost middle = entries_of(self.decoders@);
        proof {
            lemma_as_map_entry(middle, i as int);
        }
        let flowsets = decode_with(&mut self.decoders[i].decoder, data);
        proof {
            let after = fed(self.decoders@[i as int].decoder);
            lemma_as_map_update(middle, i as int, after);
            assert(entries_of(self.decoders@) =~= middle.update(i as int, (peer@, after)));
            assert(self@ =~= old(self)@.insert(peer@, heard(old(self)@, peer@).push(data@)));
        }
        flowsets
    }
}

} // verus!
